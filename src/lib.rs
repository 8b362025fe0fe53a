//! Decoding of fixed-width (positional) records into named, typed fields.
//!
//! A record layout is a list of fields, each with a width in characters.
//! The library slices a line by those widths, resolves coded values against
//! lookup tables, renders amounts under Latin number formatting, infers a
//! file's layout from the length of its first record, and turns decoded
//! rows into (row, column, value) triples.
pub mod config;
pub mod decimal;
pub mod format;
pub mod parse;
pub mod render;
pub mod summary;
pub mod text;

pub use text::parse_usize;
pub use format::{format_field_value, format_value, render_parsed_decimal, FieldKind};
pub use config::{
    calculate_format_length, checked_format_length, ConfigSchema, FieldDefinition,
    FormatDefinition,
};
pub use parse::{
    decode_record, deduce_format, field_headers, find_format, get_first_line_length,
    first_overrun, parse_records, parse_to_records, record_lines, split_into_lines,
    transpose_records, FormatError,
};
pub use render::{
    csv_record_line, html_row, join_values, sql_column_definitions, sql_column_names,
    sql_insert_statement, OutputKind,
};
pub use summary::{format_summaries, FormatSummary};
