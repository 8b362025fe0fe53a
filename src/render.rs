//! The text of the output forms of a batch of rows: delimited lines, SQL
//! statements and HTML table rows. Writing them out is left to the caller.
use vstd::prelude::*;
use crate::parse::strings_view;
use crate::text::{chars_of, extend_range, string_of};

verus! {

/// The forms in which decoded rows can be written.
#[derive(Clone, Copy, Debug, PartialEq, Eq, Structural)]
pub enum OutputKind {
    /// Delimited text ("csv").
    Csv,
    /// An interactive viewer ("term").
    Interactive,
    /// A SQL script ("sql").
    Sql,
    /// A text table ("txt").
    Text,
    /// An HTML document ("html").
    Html,
}

/// The output form named `s`, if any.
pub open spec fn output_kind_of(s: Seq<char>) -> Option<OutputKind> {
    if s == seq!['c', 's', 'v'] {
        Some(OutputKind::Csv)
    } else if s == seq!['t', 'e', 'r', 'm'] {
        Some(OutputKind::Interactive)
    } else if s == seq!['s', 'q', 'l'] {
        Some(OutputKind::Sql)
    } else if s == seq!['t', 'x', 't'] {
        Some(OutputKind::Text)
    } else if s == seq!['h', 't', 'm', 'l'] {
        Some(OutputKind::Html)
    } else {
        None
    }
}

impl OutputKind {
    /// The output form named `name` ("csv", "term", "sql", "txt", "html").
    pub fn from_name(name: &str) -> (r: Option<OutputKind>)
        ensures
            r == output_kind_of(name@),
    {
        let cs = chars_of(name);
        if crate::text::same_chars(&cs, &vec!['c', 's', 'v']) {
            Some(OutputKind::Csv)
        } else if crate::text::same_chars(&cs, &vec!['t', 'e', 'r', 'm']) {
            Some(OutputKind::Interactive)
        } else if crate::text::same_chars(&cs, &vec!['s', 'q', 'l']) {
            Some(OutputKind::Sql)
        } else if crate::text::same_chars(&cs, &vec!['t', 'x', 't']) {
            Some(OutputKind::Text)
        } else if crate::text::same_chars(&cs, &vec!['h', 't', 'm', 'l']) {
            Some(OutputKind::Html)
        } else {
            None
        }
    }
}

/// `parts` joined by `sep`.
pub open spec fn joined(parts: Seq<Seq<char>>, sep: Seq<char>) -> Seq<char>
    decreases parts.len(),
{
    if parts.len() == 0 {
        Seq::empty()
    } else if parts.len() == 1 {
        parts[0]
    } else {
        joined(parts.drop_last(), sep) + sep + parts.last()
    }
}

pub open spec fn chars_view(v: Seq<Vec<char>>) -> Seq<Seq<char>> {
    v.map_values(|c: Vec<char>| c@)
}

fn join_parts(parts: &Vec<Vec<char>>, sep: &Vec<char>) -> (r: Vec<char>)
    ensures
        r@ == joined(chars_view(parts@), sep@),
{
    let ghost pv = chars_view(parts@);
    let mut r: Vec<char> = Vec::new();
    let mut i: usize = 0;
    while i < parts.len()
        invariant
            i <= parts@.len(),
            pv == chars_view(parts@),
            r@ == joined(pv.subrange(0, i as int), sep@),
        decreases parts@.len() - i,
    {
        let ghost before = r@;
        if i > 0 {
            extend_range(&mut r, sep, 0, sep.len());
        }
        let part = &parts[i];
        extend_range(&mut r, part, 0, part.len());
        proof {
            let p = pv.subrange(0, i + 1);
            assert(p.drop_last() =~= pv.subrange(0, i as int));
            assert(sep@.subrange(0, sep@.len() as int) =~= sep@);
            assert(part@.subrange(0, part@.len() as int) =~= part@);
            assert(p.last() == part@);
            if i == 0 {
                assert(r@ =~= joined(p, sep@));
            } else {
                assert(r@ =~= before + sep@ + part@);
            }
        }
        i = i + 1;
    }
    assert(pv.subrange(0, parts@.len() as int) =~= pv);
    r
}

/// `v` with every `q` doubled.
pub open spec fn doubled(v: Seq<char>, q: char) -> Seq<char>
    decreases v.len(),
{
    if v.len() == 0 {
        Seq::empty()
    } else {
        doubled(v.drop_last(), q) + (if v.last() == q {
            seq![q, q]
        } else {
            seq![v.last()]
        })
    }
}

/// `v` between two `q`, with each `q` inside doubled.
pub open spec fn quoted(v: Seq<char>, q: char) -> Seq<char> {
    seq![q] + doubled(v, q) + seq![q]
}

/// Every value of `values` quoted with `q`.
pub open spec fn quoted_all(values: Seq<String>, q: char) -> Seq<Seq<char>> {
    Seq::new(values.len(), |i: int| quoted(values[i]@, q))
}

fn quote_value(v: &String, q: char) -> (r: Vec<char>)
    ensures
        r@ == quoted(v@, q),
{
    let cs = chars_of(v.as_str());
    let mut r: Vec<char> = Vec::new();
    r.push(q);
    let mut i: usize = 0;
    while i < cs.len()
        invariant
            i <= cs@.len(),
            r@ == seq![q] + doubled(cs@.subrange(0, i as int), q),
        decreases cs@.len() - i,
    {
        assert(cs@.subrange(0, i + 1).drop_last() =~= cs@.subrange(0, i as int));
        let ghost before = r@;
        let c = cs[i];
        r.push(c);
        if c == q {
            r.push(q);
        }
        i = i + 1;
        assert(r@ =~= seq![q] + doubled(cs@.subrange(0, i as int), q));
    }
    assert(cs@.subrange(0, cs@.len() as int) =~= cs@);
    r.push(q);
    r
}

fn quote_all(values: &Vec<String>, q: char) -> (r: Vec<Vec<char>>)
    ensures
        chars_view(r@) == quoted_all(values@, q),
{
    let mut r: Vec<Vec<char>> = Vec::new();
    let mut i: usize = 0;
    while i < values.len()
        invariant
            i <= values@.len(),
            chars_view(r@) == quoted_all(values@, q).subrange(0, i as int),
        decreases values@.len() - i,
    {
        let ghost before = chars_view(r@);
        let v = quote_value(&values[i], q);
        r.push(v);
        assert(chars_view(r@) =~= before.push(v@));
        i = i + 1;
        assert(chars_view(r@) =~= quoted_all(values@, q).subrange(0, i as int));
    }
    assert(quoted_all(values@, q).subrange(0, i as int) =~= quoted_all(values@, q));
    r
}

fn strings_to_chars(values: &Vec<String>) -> (r: Vec<Vec<char>>)
    ensures
        chars_view(r@) == strings_view(values@),
{
    let mut r: Vec<Vec<char>> = Vec::new();
    let mut i: usize = 0;
    while i < values.len()
        invariant
            i <= values@.len(),
            chars_view(r@) == strings_view(values@).subrange(0, i as int),
        decreases values@.len() - i,
    {
        let ghost before = chars_view(r@);
        let v = chars_of(values[i].as_str());
        r.push(v);
        assert(chars_view(r@) =~= before.push(v@));
        i = i + 1;
        assert(chars_view(r@) =~= strings_view(values@).subrange(0, i as int));
    }
    assert(strings_view(values@).subrange(0, i as int) =~= strings_view(values@));
    r
}

/// `values` joined by `sep`, as they are: a header line of delimited text.
pub fn join_values(values: &Vec<String>, sep: &str) -> (r: String)
    ensures
        r@ == joined(strings_view(values@), sep@),
{
    let parts = strings_to_chars(values);
    let s = chars_of(sep);
    let out = join_parts(&parts, &s);
    string_of(out.as_slice())
}

/// A record as a line of delimited text: each value in double quotes, with
/// the double quotes inside doubled, joined by `delimiter`.
pub fn csv_record_line(record: &Vec<String>, delimiter: &str) -> (r: String)
    ensures
        r@ == joined(quoted_all(record@, '"'), delimiter@),
{
    let parts = quote_all(record, '"');
    let s = chars_of(delimiter);
    let out = join_parts(&parts, &s);
    string_of(out.as_slice())
}

/// What Unicode upper-casing makes of `s`.
pub uninterp spec fn uppercase_of(s: Seq<char>) -> Seq<char>;

/// Relies on `str::to_uppercase`: the result depends on the characters alone.
#[verifier::external_body]
fn to_uppercase(s: &str) -> (r: String)
    ensures
        r@ == uppercase_of(s@),
{
    s.to_uppercase()
}

/// `s` with every space turned into `_`.
pub open spec fn spaces_to_underscores(s: Seq<char>) -> Seq<char>
    decreases s.len(),
{
    if s.len() == 0 {
        Seq::empty()
    } else {
        spaces_to_underscores(s.drop_last()) + seq![
            if s.last() == ' ' {
                '_'
            } else {
                s.last()
            },
        ]
    }
}

/// The SQL column name for header `h`: spaces made underscores, upper-cased.
pub open spec fn sql_column(h: Seq<char>) -> Seq<char> {
    uppercase_of(spaces_to_underscores(h))
}

/// The SQL column names of `headers`, in order.
pub open spec fn sql_columns(headers: Seq<String>) -> Seq<Seq<char>> {
    Seq::new(headers.len(), |i: int| sql_column(headers[i]@))
}

fn underscores_for_spaces(s: &Vec<char>) -> (r: Vec<char>)
    ensures
        r@ == spaces_to_underscores(s@),
{
    let mut r: Vec<char> = Vec::new();
    let mut i: usize = 0;
    while i < s.len()
        invariant
            i <= s@.len(),
            r@ == spaces_to_underscores(s@.subrange(0, i as int)),
        decreases s@.len() - i,
    {
        assert(s@.subrange(0, i + 1).drop_last() =~= s@.subrange(0, i as int));
        let c = s[i];
        if c == ' ' {
            r.push('_');
        } else {
            r.push(c);
        }
        i = i + 1;
        assert(r@ =~= spaces_to_underscores(s@.subrange(0, i as int)));
    }
    assert(s@.subrange(0, s@.len() as int) =~= s@);
    r
}

/// The SQL column names of `headers`: spaces made underscores, upper-cased.
pub fn sql_column_names(headers: &Vec<String>) -> (r: Vec<String>)
    ensures
        strings_view(r@) == sql_columns(headers@),
{
    let mut r: Vec<String> = Vec::new();
    let mut i: usize = 0;
    while i < headers.len()
        invariant
            i <= headers@.len(),
            strings_view(r@) == sql_columns(headers@).subrange(0, i as int),
        decreases headers@.len() - i,
    {
        let cs = chars_of(headers[i].as_str());
        let under = underscores_for_spaces(&cs);
        let text = string_of(under.as_slice());
        let col = to_uppercase(text.as_str());
        let ghost before = strings_view(r@);
        r.push(col);
        assert(strings_view(r@) =~= before.push(col@));
        i = i + 1;
        assert(strings_view(r@) =~= sql_columns(headers@).subrange(0, i as int));
    }
    assert(sql_columns(headers@).subrange(0, i as int) =~= sql_columns(headers@));
    r
}

/// The definition of column `col` in a `CREATE TABLE` statement; all but
/// the last end in a comma.
pub open spec fn column_definition(col: Seq<char>, last: bool) -> Seq<char> {
    "    "@ + col + " VARCHAR(255) NULL"@ + (if last {
        Seq::empty()
    } else {
        ","@
    })
}

/// The definitions of `columns`, in order.
pub open spec fn column_definitions(columns: Seq<String>) -> Seq<Seq<char>> {
    Seq::new(
        columns.len(),
        |i: int| column_definition(columns[i]@, i == columns.len() - 1),
    )
}

/// The column definitions of a `CREATE TABLE` statement, one per line, each
/// a nullable `VARCHAR(255)`.
pub fn sql_column_definitions(columns: &Vec<String>) -> (r: String)
    ensures
        r@ == joined(column_definitions(columns@), "\n"@),
{
    let n = columns.len();
    let mut parts: Vec<Vec<char>> = Vec::new();
    let mut i: usize = 0;
    while i < n
        invariant
            i <= n == columns@.len(),
            chars_view(parts@) == column_definitions(columns@).subrange(0, i as int),
        decreases n - i,
    {
        let mut d = chars_of("    ");
        let col = chars_of(columns[i].as_str());
        extend_range(&mut d, &col, 0, col.len());
        let ty = chars_of(" VARCHAR(255) NULL");
        extend_range(&mut d, &ty, 0, ty.len());
        if i < n - 1 {
            let comma = chars_of(",");
            extend_range(&mut d, &comma, 0, comma.len());
            assert(comma@.subrange(0, comma@.len() as int) =~= comma@);
        }
        proof {
            assert(col@.subrange(0, col@.len() as int) =~= col@);
            assert(ty@.subrange(0, ty@.len() as int) =~= ty@);
            assert(d@ =~= column_definition(columns@[i as int]@, i == n - 1));
        }
        let ghost before = chars_view(parts@);
        parts.push(d);
        assert(chars_view(parts@) =~= before.push(d@));
        i = i + 1;
        assert(chars_view(parts@) =~= column_definitions(columns@).subrange(0, i as int));
    }
    assert(column_definitions(columns@).subrange(0, i as int) =~= column_definitions(columns@));
    let newline = chars_of("\n");
    let out = join_parts(&parts, &newline);
    string_of(out.as_slice())
}

/// The `INSERT` statement of one record into `table`.
pub open spec fn insert_statement(table: Seq<char>, columns: Seq<String>, record: Seq<String>) -> Seq<
    char,
> {
    "INSERT INTO "@ + table + " ("@ + joined(strings_view(columns), ", "@) + ") VALUES ("@
        + joined(quoted_all(record, '\''), ", "@) + ");"@
}

fn append_text(out: &mut Vec<char>, s: &str)
    ensures
        final(out)@ == old(out)@ + s@,
{
    let cs = chars_of(s);
    extend_range(out, &cs, 0, cs.len());
    assert(cs@.subrange(0, cs@.len() as int) =~= cs@);
}

/// The `INSERT` statement of `record` into `table`, each value in single
/// quotes with the single quotes inside doubled.
pub fn sql_insert_statement(table: &str, columns: &Vec<String>, record: &Vec<String>) -> (r:
    String)
    ensures
        r@ == insert_statement(table@, columns@, record@),
{
    let names = join_values(columns, ", ");
    let values = quote_all(record, '\'');
    let sep = chars_of(", ");
    let joined_values = join_parts(&values, &sep);
    let mut out: Vec<char> = Vec::new();
    append_text(&mut out, "INSERT INTO ");
    append_text(&mut out, table);
    append_text(&mut out, " (");
    append_text(&mut out, names.as_str());
    append_text(&mut out, ") VALUES (");
    extend_range(&mut out, &joined_values, 0, joined_values.len());
    assert(joined_values@.subrange(0, joined_values@.len() as int) =~= joined_values@);
    append_text(&mut out, ");");
    assert(out@ =~= insert_statement(table@, columns@, record@));
    string_of(out.as_slice())
}

/// The cells of an HTML table row: each value between `<tag>` and `</tag>`.
pub open spec fn html_cells(values: Seq<String>, tag: Seq<char>) -> Seq<char>
    decreases values.len(),
{
    if values.len() == 0 {
        Seq::empty()
    } else {
        html_cells(values.drop_last(), tag) + "<"@ + tag + ">"@ + values.last()@ + "</"@ + tag
            + ">"@
    }
}

/// One row of an HTML table, indented for the document's body: header
/// cells (`th`) where `header` is set, data cells (`td`) otherwise. Values
/// are written as they are.
pub fn html_row(values: &Vec<String>, header: bool) -> (r: String)
    ensures
        r@ == "      <tr>"@ + html_cells(values@, if header {
            "th"@
        } else {
            "td"@
        }) + "</tr>"@,
{
    let tag: &str = if header {
        "th"
    } else {
        "td"
    };
    let mut out: Vec<char> = Vec::new();
    append_text(&mut out, "      <tr>");
    let ghost start = out@;
    let mut i: usize = 0;
    while i < values.len()
        invariant
            i <= values@.len(),
            out@ == start + html_cells(values@.subrange(0, i as int), tag@),
        decreases values@.len() - i,
    {
        assert(values@.subrange(0, i + 1).drop_last() =~= values@.subrange(0, i as int));
        let ghost before = out@;
        append_text(&mut out, "<");
        append_text(&mut out, tag);
        append_text(&mut out, ">");
        append_text(&mut out, values[i].as_str());
        append_text(&mut out, "</");
        append_text(&mut out, tag);
        append_text(&mut out, ">");
        i = i + 1;
        assert(out@ =~= start + html_cells(values@.subrange(0, i as int), tag@));
    }
    assert(values@.subrange(0, i as int) =~= values@);
    append_text(&mut out, "</tr>");
    string_of(out.as_slice())
}

} // verus!
