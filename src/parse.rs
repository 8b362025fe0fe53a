//! Decoding of fixed-width records, layout deduction, and the long
//! (row, column, value) form of a batch of rows.
use vstd::prelude::*;
use crate::config::{
    checked_format_length, find_key, lemma_widths_sum_prefix, key_index, lookup_description, table_lookup, widths_sum, ConfigSchema,
    FieldDefinition, FormatDefinition,
};
use crate::format::{format_chars, formatted_value, kind_of_name, FieldKind};
use crate::text::{
    chars_of, decode_windows_1252, digits_of, extend_range, parse_usize, parsed_usize, string_of,
    trim_range, trimmed, usize_digits, windows_1252_text,
};

verus! {

/// Why no layout could be settled on.
#[derive(Clone, Debug)]
pub enum FormatError {
    /// No format of this name is in the schema.
    UnknownFormat(String),
    /// No format has the measured record length.
    UnmatchedLength(usize),
    /// More than one format has the measured record length.
    AmbiguousLength(usize),
}

/// The position of the first byte `b` in `s`, or its length where there is none.
pub open spec fn byte_position(s: Seq<u8>, b: u8) -> nat
    decreases s.len(),
{
    if s.len() == 0 || s[0] == b {
        0
    } else {
        1 + byte_position(s.drop_first(), b)
    }
}

proof fn lemma_byte_position(s: Seq<u8>, b: u8, q: int)
    requires
        0 <= q <= s.len(),
        forall|k: int| 0 <= k < q ==> s[k] != b,
        q == s.len() || s[q] == b,
    ensures
        byte_position(s, b) == q,
    decreases q,
{
    if q > 0 {
        lemma_byte_position(s.drop_first(), b, q - 1);
    }
}

/// The lines of `data`: the pieces between `\n` bytes, with no empty piece
/// after a final `\n`.
pub open spec fn split_lines(data: Seq<u8>) -> Seq<Seq<u8>>
    decreases data.len(),
{
    let p = byte_position(data, 10u8) as int;
    if data.len() == 0 {
        Seq::empty()
    } else if p >= data.len() {
        seq![data]
    } else {
        seq![data.subrange(0, p)] + split_lines(data.subrange(p + 1, data.len() as int))
    }
}

pub open spec fn bytes_view(v: Seq<Vec<u8>>) -> Seq<Seq<u8>> {
    v.map_values(|l: Vec<u8>| l@)
}

/// Splits `data` into its lines.
pub fn split_into_lines(data: &[u8]) -> (r: Vec<Vec<u8>>)
    ensures
        bytes_view(r@) == split_lines(data@),
        forall|k: int| 0 <= k < r@.len() ==> (#[trigger] r@[k])@.len() <= data@.len(),
{
    let n = data.len();
    let mut lines: Vec<Vec<u8>> = Vec::new();
    let mut start: usize = 0;
    let mut i: usize = 0;
    assert(data@.subrange(0, n as int) =~= data@);
    while i < n
        invariant
            start <= i <= n == data@.len(),
            forall|k: int| start <= k < i ==> data@[k] != 10u8,
            bytes_view(lines@) + split_lines(data@.subrange(start as int, n as int)) == split_lines(
                data@,
            ),
            forall|k: int| 0 <= k < lines@.len() ==> (#[trigger] lines@[k])@.len() <= n,
        decreases n - i,
    {
        if data[i] == 10u8 {
            let ghost rest = data@.subrange(start as int, n as int);
            proof {
                lemma_byte_position(rest, 10u8, i - start);
                assert(rest.subrange(0, i - start) =~= data@.subrange(start as int, i as int));
                assert(rest.subrange(i - start + 1, rest.len() as int) =~= data@.subrange(
                    i + 1,
                    n as int,
                ));
            }
            let mut line: Vec<u8> = Vec::new();
            let mut k: usize = start;
            while k < i
                invariant
                    start <= k <= i < n == data@.len(),
                    line@ == data@.subrange(start as int, k as int),
                decreases i - k,
            {
                line.push(data[k]);
                k = k + 1;
                assert(line@ =~= data@.subrange(start as int, k as int));
            }
            let ghost before = bytes_view(lines@);
            lines.push(line);
            assert(bytes_view(lines@) =~= before.push(data@.subrange(start as int, i as int)));
            assert(bytes_view(lines@) + split_lines(data@.subrange(i + 1, n as int)) =~= before
                + split_lines(rest));
            start = i + 1;
        }
        i = i + 1;
    }
    if start < n {
        let ghost rest = data@.subrange(start as int, n as int);
        proof {
            lemma_byte_position(rest, 10u8, n - start);
        }
        let mut line: Vec<u8> = Vec::new();
        let mut k: usize = start;
        while k < n
            invariant
                start <= k <= n == data@.len(),
                line@ == data@.subrange(start as int, k as int),
            decreases n - k,
        {
            line.push(data[k]);
            k = k + 1;
            assert(line@ =~= data@.subrange(start as int, k as int));
        }
        let ghost before = bytes_view(lines@);
        lines.push(line);
        assert(bytes_view(lines@) =~= before + split_lines(rest));
    } else {
        assert(bytes_view(lines@) =~= bytes_view(lines@) + split_lines(
            data@.subrange(start as int, n as int),
        ));
    }
    lines
}

/// The text of one record: the line decoded from the legacy character set,
/// without a carriage return at its end.
pub open spec fn record_text(line: Seq<u8>) -> Seq<char> {
    let t = windows_1252_text(line);
    if t.len() > 0 && t.last() == '\r' {
        t.drop_last()
    } else {
        t
    }
}

/// The length, in characters, of the first record of `data`.
pub open spec fn first_record_length(data: Seq<u8>) -> int {
    record_text(data.subrange(0, byte_position(data, 10u8) as int)).len() as int
}

/// Measures the first record of `data`: its length in characters once
/// decoded, without its line terminator.
pub fn get_first_line_length(data: &[u8]) -> (r: usize)
    requires
        data@.len() <= usize::MAX / 4,
    ensures
        r == first_record_length(data@),
{
    let n = data.len();
    let mut p: usize = 0;
    while p < n && data[p] != 10u8
        invariant
            p <= n == data@.len(),
            forall|k: int| 0 <= k < p ==> data@[k] != 10u8,
        decreases n - p,
    {
        p = p + 1;
    }
    proof {
        lemma_byte_position(data@, 10u8, p as int);
    }
    let mut line: Vec<u8> = Vec::new();
    let mut k: usize = 0;
    while k < p
        invariant
            k <= p <= n == data@.len(),
            line@ == data@.subrange(0, k as int),
        decreases p - k,
    {
        line.push(data[k]);
        k = k + 1;
        assert(line@ =~= data@.subrange(0, k as int));
    }
    let text = decode_windows_1252(line.as_slice());
    let cs = chars_of(text.as_str());
    let len = cs.len();
    if len > 0 && cs[len - 1] == '\r' {
        len - 1
    } else {
        len
    }
}

/// Whether format `i` has record length `len`.
pub open spec fn format_matches(formats: Seq<(String, FormatDefinition)>, i: int, len: int) -> bool {
    widths_sum(formats[i].1.fields@) == len
}

/// How many of the first `k` formats have record length `len`.
pub open spec fn count_matches(formats: Seq<(String, FormatDefinition)>, len: int, k: int) -> nat
    decreases k,
{
    if k <= 0 {
        0
    } else {
        count_matches(formats, len, k - 1) + (if format_matches(formats, k - 1, len) {
            1nat
        } else {
            0nat
        })
    }
}

/// The outcome of deducing the layout of records of length `len`: the name
/// of the one format of that length; an error where none or several have it.
pub open spec fn deduced(formats: Seq<(String, FormatDefinition)>, len: usize) -> Result<
    Seq<char>,
    FormatError,
> {
    let c = count_matches(formats, len as int, formats.len() as int);
    if c == 0 {
        Err(FormatError::UnmatchedLength(len))
    } else if c == 1 {
        Ok(
            formats[choose|i: int|
                0 <= i < formats.len() && format_matches(formats, i, len as int)].0@,
        )
    } else {
        Err(FormatError::AmbiguousLength(len))
    }
}

pub open spec fn name_result_view(r: Result<String, FormatError>) -> Result<Seq<char>, FormatError> {
    match r {
        Ok(s) => Ok(s@),
        Err(e) => Err(e),
    }
}

proof fn lemma_count_at_least_one(formats: Seq<(String, FormatDefinition)>, len: int, i: int, k: int)
    requires
        0 <= i < k,
        format_matches(formats, i, len),
    ensures
        count_matches(formats, len, k) >= 1,
    decreases k,
{
    if i < k - 1 {
        lemma_count_at_least_one(formats, len, i, k - 1);
    }
}

proof fn lemma_count_at_least_two(
    formats: Seq<(String, FormatDefinition)>,
    len: int,
    i: int,
    j: int,
    k: int,
)
    requires
        0 <= i < j < k,
        format_matches(formats, i, len),
        format_matches(formats, j, len),
    ensures
        count_matches(formats, len, k) >= 2,
    decreases k,
{
    if j < k - 1 {
        lemma_count_at_least_two(formats, len, i, j, k - 1);
    } else {
        lemma_count_at_least_one(formats, len, i, k - 1);
    }
}

proof fn lemma_count_only(formats: Seq<(String, FormatDefinition)>, len: int, i: int, k: int)
    requires
        0 <= i < formats.len(),
        0 <= k <= formats.len(),
        forall|j: int| 0 <= j < formats.len() && j != i ==> !format_matches(formats, j, len),
    ensures
        count_matches(formats, len, k) == (if i < k && format_matches(formats, i, len) {
            1nat
        } else {
            0nat
        }),
    decreases k,
{
    if k > 0 {
        lemma_count_only(formats, len, i, k - 1);
    }
}

/// Picks the layout of `data` among `formats`: the one format whose record
/// length equals the length of the first record of `data`. None, or more
/// than one, is an error that carries the measured length.
pub fn deduce_format(data: &[u8], formats: &Vec<(String, FormatDefinition)>) -> (r: Result<
    String,
    FormatError,
>)
    requires
        data@.len() <= usize::MAX / 4,
    ensures
        name_result_view(r) == deduced(formats@, first_record_length(data@) as usize),
{
    let len = get_first_line_length(data);
    let mut count: usize = 0;
    let mut found: usize = 0;
    let mut i: usize = 0;
    while i < formats.len()
        invariant
            i <= formats@.len(),
            len == first_record_length(data@),
            count == count_matches(formats@, len as int, i as int),
            count <= i,
            count > 0 ==> found < i && format_matches(formats@, found as int, len as int),
        decreases formats@.len() - i,
    {
        let matched = match checked_format_length(formats[i].1.fields.as_slice()) {
            Some(width) => width == len,
            None => false,
        };
        proof {
            let fs = formats@[i as int].1.fields@;
            lemma_widths_sum_prefix(fs, fs.len() as int);
            assert(fs.subrange(0, fs.len() as int) =~= fs);
        }
        assert(matched == format_matches(formats@, i as int, len as int));
        if matched {
            if count == 0 {
                found = i;
            }
            count = count + 1;
        }
        i = i + 1;
    }
    if count == 0 {
        Err(FormatError::UnmatchedLength(len))
    } else if count == 1 {
        proof {
            let c = choose|c: int| 0 <= c < formats@.len() && format_matches(formats@, c, len as int);
            assert(0 <= found < formats@.len() && format_matches(formats@, found as int, len as int));
            if c < found {
                lemma_count_at_least_two(formats@, len as int, c, found as int, formats@.len() as int);
            } else if c > found {
                lemma_count_at_least_two(formats@, len as int, found as int, c, formats@.len() as int);
            }
        }
        Ok(formats[found].0.clone())
    } else {
        Err(FormatError::AmbiguousLength(len))
    }
}

/// Deduction is correct: where exactly one format has the length of the
/// first record of `data`, that format's name is the outcome.
pub proof fn lemma_deduce_unique_match(
    data: Seq<u8>,
    formats: Seq<(String, FormatDefinition)>,
    i: int,
)
    requires
        0 <= i < formats.len(),
        0 <= first_record_length(data) <= usize::MAX,
        format_matches(formats, i, first_record_length(data)),
        forall|j: int|
            0 <= j < formats.len() && j != i ==> !format_matches(
                formats,
                j,
                first_record_length(data),
            ),
    ensures
        deduced(formats, first_record_length(data) as usize) == Ok::<Seq<char>, FormatError>(
            formats[i].0@,
        ),
{
    let len = first_record_length(data);
    lemma_count_only(formats, len, i, formats.len() as int);
    let c = choose|c: int| 0 <= c < formats.len() && format_matches(formats, c, len);
    assert(0 <= i < formats.len() && format_matches(formats, i, len));
    assert(c == i);
}

/// Deduction is deterministic under ambiguity: where two formats share the
/// length of the first record of `data`, the outcome is always the
/// ambiguity error carrying that length, never either name.
pub proof fn lemma_deduce_ambiguous(
    data: Seq<u8>,
    formats: Seq<(String, FormatDefinition)>,
    i: int,
    j: int,
)
    requires
        0 <= i < formats.len(),
        0 <= j < formats.len(),
        i != j,
        0 <= first_record_length(data) <= usize::MAX,
        format_matches(formats, i, first_record_length(data)),
        format_matches(formats, j, first_record_length(data)),
    ensures
        deduced(formats, first_record_length(data) as usize) == Err::<Seq<char>, FormatError>(
            FormatError::AmbiguousLength(first_record_length(data) as usize),
        ),
{
    let len = first_record_length(data);
    if i < j {
        lemma_count_at_least_two(formats, len, i, j, formats.len() as int);
    } else {
        lemma_count_at_least_two(formats, len, j, i, formats.len() as int);
    }
}

/// Finds the format named `name` in `schema`.
pub fn find_format<'a>(schema: &'a ConfigSchema, name: &String) -> (r: Result<
    &'a FormatDefinition,
    FormatError,
>)
    ensures
        match r {
            Ok(f) => key_index(schema.formats@, name@) matches Some(i) && *f
                == schema.formats@[i].1,
            Err(e) => key_index(schema.formats@, name@) is None && (e matches FormatError::UnknownFormat(
                n,
            ) && n@ == name@),
        },
{
    match find_key(&schema.formats, name) {
        Some(i) => Ok(&schema.formats[i].1),
        None => Err(FormatError::UnknownFormat(name.clone())),
    }
}

/// The decimal places of an amount field: its first parameter read as a
/// number, two where it is none.
pub open spec fn decimal_places_of(f: FieldDefinition) -> nat {
    match parsed_usize(f.param1@) {
        Some(n) => n as nat,
        None => 2,
    }
}

/// The value of field `f` whose slice of the line is `raw`: the trimmed
/// text; for a table field (unless lookups are suppressed) followed by
/// " - " and the description where its table has the code; for an amount,
/// rendered as a number.
pub open spec fn field_value(
    raw: Seq<char>,
    f: FieldDefinition,
    tables: Seq<(String, Vec<(String, String)>)>,
    grouped: bool,
    no_tables: bool,
) -> Seq<char> {
    let kind = kind_of_name(f.tipo@);
    let v = trimmed(raw);
    let looked = if kind == FieldKind::Table && !no_tables {
        match table_lookup(tables, f.param1@, v) {
            Some(d) => v + seq![' ', '-', ' '] + d,
            None => v,
        }
    } else {
        v
    };
    if kind == FieldKind::ImplicitAmount || kind == FieldKind::ExplicitAmount {
        formatted_value(looked, kind, grouped, decimal_places_of(f))
    } else {
        looked
    }
}

/// The values of fields `from..` of `line`, the first of them starting at
/// `cursor`. A field that runs past the end of the line gives one empty
/// value and ends the record.
pub open spec fn decoded_fields(
    line: Seq<char>,
    fields: Seq<FieldDefinition>,
    from: int,
    cursor: int,
    tables: Seq<(String, Vec<(String, String)>)>,
    grouped: bool,
    no_tables: bool,
) -> Seq<Seq<char>>
    decreases fields.len() - from,
{
    if from < 0 || from >= fields.len() {
        Seq::empty()
    } else if cursor + fields[from].len > line.len() {
        seq![Seq::empty()]
    } else {
        seq![
            field_value(
                line.subrange(cursor, cursor + fields[from].len),
                fields[from],
                tables,
                grouped,
                no_tables,
            ),
        ] + decoded_fields(
            line,
            fields,
            from + 1,
            cursor + fields[from].len,
            tables,
            grouped,
            no_tables,
        )
    }
}

/// The record that `line` decodes to under the layout `fields`.
pub open spec fn decoded_record(
    line: Seq<char>,
    fields: Seq<FieldDefinition>,
    tables: Seq<(String, Vec<(String, String)>)>,
    grouped: bool,
    no_tables: bool,
) -> Seq<Seq<char>> {
    decoded_fields(line, fields, 0, 0, tables, grouped, no_tables)
}

pub open spec fn strings_view(v: Seq<String>) -> Seq<Seq<char>> {
    v.map_values(|s: String| s@)
}

proof fn lemma_decoded_fields_len(
    line: Seq<char>,
    fields: Seq<FieldDefinition>,
    from: int,
    cursor: int,
    tables: Seq<(String, Vec<(String, String)>)>,
    grouped: bool,
    no_tables: bool,
)
    requires
        0 <= from <= fields.len(),
    ensures
        decoded_fields(line, fields, from, cursor, tables, grouped, no_tables).len() <= fields.len()
            - from,
    decreases fields.len() - from,
{
    if from < fields.len() && cursor + fields[from].len <= line.len() {
        lemma_decoded_fields_len(
            line,
            fields,
            from + 1,
            cursor + fields[from].len,
            tables,
            grouped,
            no_tables,
        );
    }
}

fn field_value_of(
    line: &Vec<char>,
    from: usize,
    to: usize,
    f: &FieldDefinition,
    tables: &Vec<(String, Vec<(String, String)>)>,
    grouped: bool,
    no_tables: bool,
) -> (r: String)
    requires
        from <= to <= line@.len(),
    ensures
        r@ == field_value(line@.subrange(from as int, to as int), *f, tables@, grouped, no_tables),
{
    let v = trim_range(line, from, to);
    let kind = FieldKind::from_name(f.tipo.as_str());
    let mut looked: Vec<char> = Vec::new();
    extend_range(&mut looked, &v, 0, v.len());
    assert(v@.subrange(0, v@.len() as int) =~= v@);
    if kind == FieldKind::Table && !no_tables {
        let code = string_of(v.as_slice());
        match lookup_description(tables, &f.param1, &code) {
            Some(d) => {
                looked.push(' ');
                looked.push('-');
                looked.push(' ');
                let dc = chars_of(d.as_str());
                extend_range(&mut looked, &dc, 0, dc.len());
                assert(dc@.subrange(0, dc@.len() as int) =~= dc@);
                assert(looked@ =~= v@ + seq![' ', '-', ' '] + d@);
            },
            None => {},
        }
    }
    if kind == FieldKind::ImplicitAmount || kind == FieldKind::ExplicitAmount {
        let places: usize = match parse_usize(f.param1.as_str()) {
            Some(n) => n,
            None => 2,
        };
        let out = format_chars(&looked, kind, grouped, places);
        string_of(out.as_slice())
    } else {
        string_of(looked.as_slice())
    }
}

fn decode_chars(
    line: &Vec<char>,
    fields: &[FieldDefinition],
    tables: &Vec<(String, Vec<(String, String)>)>,
    grouped: bool,
    no_tables: bool,
) -> (r: Vec<String>)
    ensures
        strings_view(r@) == decoded_record(line@, fields@, tables@, grouped, no_tables),
{
    let mut out: Vec<String> = Vec::new();
    let mut cursor: usize = 0;
    let mut i: usize = 0;
    while i < fields.len()
        invariant
            i <= fields@.len(),
            cursor <= line@.len(),
            strings_view(out@) + decoded_fields(
                line@,
                fields@,
                i as int,
                cursor as int,
                tables@,
                grouped,
                no_tables,
            ) == decoded_record(line@, fields@, tables@, grouped, no_tables),
        decreases fields@.len() - i,
    {
        let w = fields[i].len;
        let ghost before = strings_view(out@);
        if w > line.len() - cursor {
            out.push(String::new());
            assert(strings_view(out@) =~= before + decoded_fields(
                line@,
                fields@,
                i as int,
                cursor as int,
                tables@,
                grouped,
                no_tables,
            ));
            return out;
        }
        let value = field_value_of(line, cursor, cursor + w, &fields[i], tables, grouped, no_tables);
        out.push(value);
        assert(strings_view(out@) =~= before.push(value@));
        assert(before.push(value@) + decoded_fields(
            line@,
            fields@,
            i + 1,
            cursor + w,
            tables@,
            grouped,
            no_tables,
        ) =~= before + decoded_fields(
            line@,
            fields@,
            i as int,
            cursor as int,
            tables@,
            grouped,
            no_tables,
        ));
        cursor = cursor + w;
        i = i + 1;
    }
    assert(strings_view(out@) =~= strings_view(out@) + decoded_fields(
        line@,
        fields@,
        i as int,
        cursor as int,
        tables@,
        grouped,
        no_tables,
    ));
    out
}

/// Decodes one line under the layout `fields`: each field takes the next
/// `len` characters, trimmed, resolved against `schema`'s lookup tables
/// (unless `dont_use_tables`), and rendered as a number for amounts. A field
/// that runs past the end of the line gives an empty value and ends the
/// record early, so a short line gives a short record.
pub fn decode_record(
    line: &str,
    fields: &[FieldDefinition],
    schema: &ConfigSchema,
    format_numeric: bool,
    dont_use_tables: bool,
) -> (r: Vec<String>)
    ensures
        strings_view(r@) == decoded_record(
            line@,
            fields@,
            schema.tables@,
            format_numeric,
            dont_use_tables,
        ),
        r@.len() <= fields@.len(),
{
    let cs = chars_of(line);
    let r = decode_chars(&cs, fields, &schema.tables, format_numeric, dont_use_tables);
    proof {
        lemma_decoded_fields_len(
            line@,
            fields@,
            0,
            0,
            schema.tables@,
            format_numeric,
            dont_use_tables,
        );
    }
    r
}

proof fn lemma_short_line(
    line: Seq<char>,
    fields: Seq<FieldDefinition>,
    from: int,
    k: int,
    tables: Seq<(String, Vec<(String, String)>)>,
    grouped: bool,
    no_tables: bool,
)
    requires
        0 <= from <= k < fields.len(),
        line.len() < widths_sum(fields.subrange(0, k + 1)),
    ensures
        decoded_fields(
            line,
            fields,
            from,
            widths_sum(fields.subrange(0, from)),
            tables,
            grouped,
            no_tables,
        ).len() <= k + 1 - from,
    decreases k - from,
{
    let cursor = widths_sum(fields.subrange(0, from));
    assert(fields.subrange(0, from + 1).drop_last() =~= fields.subrange(0, from));
    if cursor + fields[from].len <= line.len() {
        if from == k {
            assert(false);
        }
        lemma_short_line(line, fields, from + 1, k, tables, grouped, no_tables);
    }
}

/// A line too short for the fields before the last one gives a short
/// record: where the line ends before the end of field `k`, and `k` is not
/// the last field, the record has at most `k + 1` values, fewer than the
/// layout has fields.
pub proof fn lemma_truncated_line(
    line: Seq<char>,
    fields: Seq<FieldDefinition>,
    k: int,
    tables: Seq<(String, Vec<(String, String)>)>,
    grouped: bool,
    no_tables: bool,
)
    requires
        0 <= k,
        k + 1 < fields.len(),
        line.len() < widths_sum(fields.subrange(0, k + 1)),
    ensures
        decoded_record(line, fields, tables, grouped, no_tables).len() <= k + 1,
        decoded_record(line, fields, tables, grouped, no_tables).len() < fields.len(),
{
    assert(fields.subrange(0, 0) =~= Seq::<FieldDefinition>::empty());
    lemma_short_line(line, fields, 0, k, tables, grouped, no_tables);
}

proof fn lemma_long_line(
    line: Seq<char>,
    fields: Seq<FieldDefinition>,
    from: int,
    tables: Seq<(String, Vec<(String, String)>)>,
    grouped: bool,
    no_tables: bool,
)
    requires
        0 <= from <= fields.len(),
        widths_sum(fields) <= line.len(),
    ensures
        decoded_fields(
            line,
            fields,
            from,
            widths_sum(fields.subrange(0, from)),
            tables,
            grouped,
            no_tables,
        ).len() == fields.len() - from,
    decreases fields.len() - from,
{
    if from < fields.len() {
        lemma_widths_sum_prefix(fields, from + 1);
        assert(fields.subrange(0, from + 1).drop_last() =~= fields.subrange(0, from));
        lemma_long_line(line, fields, from + 1, tables, grouped, no_tables);
    }
}

/// A line at least as long as the layout's record length gives a record
/// with one value per field.
pub proof fn lemma_full_line(
    line: Seq<char>,
    fields: Seq<FieldDefinition>,
    tables: Seq<(String, Vec<(String, String)>)>,
    grouped: bool,
    no_tables: bool,
)
    requires
        widths_sum(fields) <= line.len(),
    ensures
        decoded_record(line, fields, tables, grouped, no_tables).len() == fields.len(),
{
    assert(fields.subrange(0, 0) =~= Seq::<FieldDefinition>::empty());
    lemma_long_line(line, fields, 0, tables, grouped, no_tables);
}

/// The label of column `j`: its header, or "col_<j+1>" past the headers.
pub open spec fn column_label(headers: Seq<Seq<char>>, j: int) -> Seq<char> {
    if 0 <= j < headers.len() {
        headers[j]
    } else {
        seq!['c', 'o', 'l', '_'] + digits_of((j + 1) as nat)
    }
}

/// The long rows of record `i`: one (row number, column label, value) row
/// per value, the row number counted from one.
pub open spec fn long_rows(headers: Seq<Seq<char>>, i: int, record: Seq<Seq<char>>) -> Seq<
    Seq<Seq<char>>,
> {
    Seq::new(
        record.len(),
        |j: int| seq![digits_of((i + 1) as nat), column_label(headers, j), record[j]],
    )
}

/// The long form of `records`: the long rows of each record, in order.
pub open spec fn transposed(headers: Seq<Seq<char>>, records: Seq<Seq<Seq<char>>>) -> Seq<
    Seq<Seq<char>>,
>
    decreases records.len(),
{
    if records.len() == 0 {
        Seq::empty()
    } else {
        transposed(headers, records.drop_last()) + long_rows(
            headers,
            records.len() - 1,
            records.last(),
        )
    }
}

/// The header of the long form: "#", "Columna", "Valor".
pub open spec fn long_headers() -> Seq<Seq<char>> {
    seq![seq!['#'], seq!['C', 'o', 'l', 'u', 'm', 'n', 'a'], seq!['V', 'a', 'l', 'o', 'r']]
}

pub open spec fn rows_view(v: Seq<Vec<String>>) -> Seq<Seq<Seq<char>>> {
    v.map_values(|r: Vec<String>| strings_view(r@))
}

fn column_label_of(headers: &Vec<String>, j: usize) -> (r: String)
    requires
        j < usize::MAX,
    ensures
        r@ == column_label(strings_view(headers@), j as int),
{
    if j < headers.len() {
        headers[j].clone()
    } else {
        let mut cs: Vec<char> = Vec::new();
        cs.push('c');
        cs.push('o');
        cs.push('l');
        cs.push('_');
        let ds = usize_digits(j + 1);
        extend_range(&mut cs, &ds, 0, ds.len());
        assert(ds@.subrange(0, ds@.len() as int) =~= ds@);
        string_of(cs.as_slice())
    }
}

fn text_of(cs: &Vec<char>) -> (r: String)
    ensures
        r@ == cs@,
{
    string_of(cs.as_slice())
}

/// Turns a batch of rows into its long form: header "#", "Columna",
/// "Valor", and one (row number, column label, value) row per value of
/// each record, in order.
pub fn transpose_records(headers: &Vec<String>, records: &Vec<Vec<String>>) -> (r: (
    Vec<String>,
    Vec<Vec<String>>,
))
    ensures
        strings_view(r.0@) == long_headers(),
        rows_view(r.1@) == transposed(strings_view(headers@), rows_view(records@)),
{
    let ghost hv = strings_view(headers@);
    let ghost rv = rows_view(records@);
    let mut out: Vec<Vec<String>> = Vec::new();
    let mut i: usize = 0;
    while i < records.len()
        invariant
            i <= records@.len(),
            hv == strings_view(headers@),
            rv == rows_view(records@),
            rows_view(out@) == transposed(hv, rv.subrange(0, i as int)),
        decreases records@.len() - i,
    {
        let record = &records[i];
        let num = text_of(&usize_digits(i + 1));
        let ghost start = rows_view(out@);
        let mut j: usize = 0;
        while j < record.len()
            invariant
                i < records@.len(),
                *record == records@[i as int],
                j <= record@.len(),
                hv == strings_view(headers@),
                num@ == digits_of((i + 1) as nat),
                rows_view(out@) == start + long_rows(hv, i as int, strings_view(record@)).subrange(
                    0,
                    j as int,
                ),
            decreases record@.len() - j,
        {
            let mut row: Vec<String> = Vec::new();
            row.push(num.clone());
            row.push(column_label_of(headers, j));
            row.push(record[j].clone());
            let ghost before = rows_view(out@);
            out.push(row);
            assert(strings_view(row@) =~= long_rows(hv, i as int, strings_view(record@))[j as int]);
            assert(rows_view(out@) =~= before.push(strings_view(row@)));
            j = j + 1;
            assert(rows_view(out@) =~= start + long_rows(
                hv,
                i as int,
                strings_view(record@),
            ).subrange(0, j as int));
        }
        proof {
            let lr = long_rows(hv, i as int, strings_view(record@));
            assert(lr.subrange(0, j as int) =~= lr);
            assert(rv.subrange(0, i + 1).drop_last() =~= rv.subrange(0, i as int));
            assert(rv[i as int] == strings_view(record@));
        }
        i = i + 1;
    }
    assert(rv.subrange(0, records@.len() as int) =~= rv);
    let h0 = text_of(&vec!['#']);
    let h1 = text_of(&vec!['C', 'o', 'l', 'u', 'm', 'n', 'a']);
    let h2 = text_of(&vec!['V', 'a', 'l', 'o', 'r']);
    assert(h0@ =~= seq!['#']);
    assert(h1@ =~= seq!['C', 'o', 'l', 'u', 'm', 'n', 'a']);
    assert(h2@ =~= seq!['V', 'a', 'l', 'o', 'r']);
    let mut hs: Vec<String> = Vec::new();
    hs.push(h0);
    hs.push(h1);
    hs.push(h2);
    assert(strings_view(hs@) =~= long_headers());
    (hs, out)
}

/// Transposing `M` records of `N` values each gives `M * N` rows of three
/// columns; row `k` holds row number `k / N + 1` (so the numbers 1 to `M`,
/// each repeated `N` times), the label of column `k % N`, and that value.
pub proof fn lemma_transpose_shape(headers: Seq<Seq<char>>, records: Seq<Seq<Seq<char>>>, n: int)
    requires
        n > 0,
        forall|i: int| 0 <= i < records.len() ==> (#[trigger] records[i]).len() == n,
    ensures
        transposed(headers, records).len() == records.len() * n,
        forall|k: int|
            0 <= k < records.len() * n ==> {
                let row = #[trigger] transposed(headers, records)[k];
                &&& row.len() == 3
                &&& row[0] == digits_of((k / n + 1) as nat)
                &&& row[1] == column_label(headers, k % n)
                &&& row[2] == records[k / n][k % n]
            },
    decreases records.len(),
{
    if records.len() > 0 {
        let m = records.len() - 1;
        let rest = records.drop_last();
        lemma_transpose_shape(headers, rest, n);
        assert(m * n + n == records.len() * n) by (nonlinear_arith)
            requires
                m == records.len() - 1,
        ;
        assert forall|k: int| 0 <= k < records.len() * n implies {
            let row = #[trigger] transposed(headers, records)[k];
            &&& row.len() == 3
            &&& row[0] == digits_of((k / n + 1) as nat)
            &&& row[1] == column_label(headers, k % n)
            &&& row[2] == records[k / n][k % n]
        } by {
            if k < m * n {
                assert(transposed(headers, records)[k] == transposed(headers, rest)[k]);
                let q = k / n;
                assert(0 <= q < m) by {
                    vstd::arithmetic::div_mod::lemma_fundamental_div_mod(k, n);
                    vstd::arithmetic::div_mod::lemma_mod_pos_bound(k, n);
                    let r = k % n;
                    assert(0 <= q < m) by (nonlinear_arith)
                        requires
                            k == n * q + r,
                            0 <= r < n,
                            0 <= k < m * n,
                    ;
                }
                assert(rest[q] == records[q]);
            } else {
                let j = k - m * n;
                vstd::arithmetic::div_mod::lemma_fundamental_div_mod_converse(k, n, m, j);
            }
        }
    }
}

/// The names of `fields`, in order.
pub open spec fn field_names(fields: Seq<FieldDefinition>) -> Seq<Seq<char>> {
    Seq::new(fields.len(), |i: int| fields[i].nombre@)
}

/// The records of every line of `data` under the layout `fields`.
pub open spec fn parsed_rows(
    data: Seq<u8>,
    fields: Seq<FieldDefinition>,
    tables: Seq<(String, Vec<(String, String)>)>,
    grouped: bool,
    no_tables: bool,
) -> Seq<Seq<Seq<char>>> {
    let lines = split_lines(data);
    Seq::new(
        lines.len(),
        |i: int| decoded_record(windows_1252_text(lines[i]), fields, tables, grouped, no_tables),
    )
}

/// Decodes every line of `data` (split at `\n`, each decoded from the
/// legacy character set) under the layout `fields`: one record per line,
/// a short one where the line is short.
pub fn parse_records(
    data: &[u8],
    fields: &[FieldDefinition],
    schema: &ConfigSchema,
    format_numeric: bool,
    dont_use_tables: bool,
) -> (r: Vec<Vec<String>>)
    requires
        data@.len() <= usize::MAX / 4,
    ensures
        rows_view(r@) == parsed_rows(
            data@,
            fields@,
            schema.tables@,
            format_numeric,
            dont_use_tables,
        ),
        r@.len() == split_lines(data@).len(),
{
    let lines = split_into_lines(data);
    let ghost lv = split_lines(data@);
    let mut records: Vec<Vec<String>> = Vec::new();
    let mut i: usize = 0;
    while i < lines.len()
        invariant
            i <= lines@.len(),
            bytes_view(lines@) == lv,
            lv == split_lines(data@),
            data@.len() <= usize::MAX / 4,
            forall|k: int| 0 <= k < lines@.len() ==> (#[trigger] lines@[k])@.len() <= data@.len(),
            rows_view(records@) == parsed_rows(
                data@,
                fields@,
                schema.tables@,
                format_numeric,
                dont_use_tables,
            ).subrange(0, i as int),
        decreases lines@.len() - i,
    {
        assert(lines@[i as int]@ == lv[i as int]);
        let text = decode_windows_1252(lines[i].as_slice());
        let record = decode_record(
            text.as_str(),
            fields,
            schema,
            format_numeric,
            dont_use_tables,
        );
        let ghost before = rows_view(records@);
        records.push(record);
        assert(rows_view(records@) =~= before.push(strings_view(record@)));
        i = i + 1;
        assert(rows_view(records@) =~= parsed_rows(
            data@,
            fields@,
            schema.tables@,
            format_numeric,
            dont_use_tables,
        ).subrange(0, i as int));
    }
    assert(parsed_rows(data@, fields@, schema.tables@, format_numeric, dont_use_tables).subrange(
        0,
        i as int,
    ) =~= parsed_rows(data@, fields@, schema.tables@, format_numeric, dont_use_tables));
    records
}

/// The names of `fields`, as header row.
pub fn field_headers(fields: &[FieldDefinition]) -> (r: Vec<String>)
    ensures
        strings_view(r@) == field_names(fields@),
{
    let mut headers: Vec<String> = Vec::new();
    let mut i: usize = 0;
    while i < fields.len()
        invariant
            i <= fields@.len(),
            strings_view(headers@) == field_names(fields@).subrange(0, i as int),
        decreases fields@.len() - i,
    {
        let ghost before = strings_view(headers@);
        let name = fields[i].nombre.clone();
        headers.push(name);
        assert(strings_view(headers@) =~= before.push(name@));
        i = i + 1;
        assert(strings_view(headers@) =~= field_names(fields@).subrange(0, i as int));
    }
    assert(field_names(fields@).subrange(0, i as int) =~= field_names(fields@));
    headers
}

/// Decodes every line of `data` under the layout `fields` and returns the
/// header (the field names) with the records; in long form where
/// `long_format` is set (see [`transpose_records`]).
pub fn parse_to_records(
    data: &[u8],
    fields: &[FieldDefinition],
    schema: &ConfigSchema,
    format_numeric: bool,
    dont_use_tables: bool,
    long_format: bool,
) -> (r: (Vec<String>, Vec<Vec<String>>))
    requires
        data@.len() <= usize::MAX / 4,
    ensures
        ({
            let rows = parsed_rows(
                data@,
                fields@,
                schema.tables@,
                format_numeric,
                dont_use_tables,
            );
            if long_format {
                &&& strings_view(r.0@) == long_headers()
                &&& rows_view(r.1@) == transposed(field_names(fields@), rows)
            } else {
                &&& strings_view(r.0@) == field_names(fields@)
                &&& rows_view(r.1@) == rows
            }
        }),
{
    let headers = field_headers(fields);
    let records = parse_records(data, fields, schema, format_numeric, dont_use_tables);
    if long_format {
        transpose_records(&headers, &records)
    } else {
        (headers, records)
    }
}

/// The index of the first of fields `from..`, the first of them starting
/// at `cursor`, that runs past a line of `len` characters.
pub open spec fn overrun_from(len: int, fields: Seq<FieldDefinition>, from: int, cursor: int) -> Option<
    int,
>
    decreases fields.len() - from,
{
    if from < 0 || from >= fields.len() {
        None
    } else if cursor + fields[from].len > len {
        Some(from)
    } else {
        overrun_from(len, fields, from + 1, cursor + fields[from].len)
    }
}

/// The first field of the layout `fields` that runs past the end of `line`,
/// if any: the field whose value comes out empty and ends a short record.
pub fn first_overrun(line: &str, fields: &[FieldDefinition]) -> (r: Option<usize>)
    ensures
        match r {
            Some(k) => overrun_from(line@.len() as int, fields@, 0, 0) == Some(k as int),
            None => overrun_from(line@.len() as int, fields@, 0, 0) is None,
        },
{
    let len = chars_of(line).len();
    let mut cursor: usize = 0;
    let mut i: usize = 0;
    while i < fields.len()
        invariant
            i <= fields@.len(),
            cursor <= len == line@.len(),
            overrun_from(len as int, fields@, i as int, cursor as int) == overrun_from(
                len as int,
                fields@,
                0,
                0,
            ),
        decreases fields@.len() - i,
    {
        let w = fields[i].len;
        if w > len - cursor {
            return Some(i);
        }
        cursor = cursor + w;
        i = i + 1;
    }
    None
}

/// The text of every line of `data`, decoded from the legacy character set.
pub fn record_lines(data: &[u8]) -> (r: Vec<String>)
    requires
        data@.len() <= usize::MAX / 4,
    ensures
        strings_view(r@) == split_lines(data@).map_values(|l: Seq<u8>| windows_1252_text(l)),
{
    let lines = split_into_lines(data);
    let ghost lv = split_lines(data@);
    let mut texts: Vec<String> = Vec::new();
    let mut i: usize = 0;
    while i < lines.len()
        invariant
            i <= lines@.len(),
            bytes_view(lines@) == lv,
            lv == split_lines(data@),
            data@.len() <= usize::MAX / 4,
            forall|k: int| 0 <= k < lines@.len() ==> (#[trigger] lines@[k])@.len() <= data@.len(),
            strings_view(texts@) == lv.map_values(|l: Seq<u8>| windows_1252_text(l)).subrange(
                0,
                i as int,
            ),
        decreases lines@.len() - i,
    {
        assert(lines@[i as int]@ == lv[i as int]);
        let text = decode_windows_1252(lines[i].as_slice());
        let ghost before = strings_view(texts@);
        texts.push(text);
        assert(strings_view(texts@) =~= before.push(text@));
        i = i + 1;
        assert(strings_view(texts@) =~= lv.map_values(|l: Seq<u8>| windows_1252_text(l)).subrange(
            0,
            i as int,
        ));
    }
    assert(lv.map_values(|l: Seq<u8>| windows_1252_text(l)).subrange(0, i as int)
        =~= lv.map_values(|l: Seq<u8>| windows_1252_text(l)));
    texts
}

} // verus!
