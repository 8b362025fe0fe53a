//! The schema: record layouts (formats), their fields, and lookup tables.
use vstd::prelude::*;

verus! {

broadcast use vstd::seq_lib::group_to_multiset_ensures;

/// One column of a record layout.
#[derive(Clone, Debug)]
pub struct FieldDefinition {
    /// Display label of the column.
    pub nombre: String,
    /// Width of the column, in characters.
    pub len: usize,
    /// Type name: "table", "zamount", "amount", "numeric", or any other for text.
    pub tipo: String,
    /// For "table", the lookup table's name; for amounts, the decimal places.
    pub param1: String,
    /// A further parameter, unused by decoding.
    pub param2: String,
}

/// A record layout: an ordered list of fields.
#[derive(Clone, Debug)]
pub struct FormatDefinition {
    pub category: String,
    pub delimiter: String,
    pub fields: Vec<FieldDefinition>,
}

/// The whole schema: named formats, named lookup tables (code to
/// description), and shortcuts. Names are looked up first match first.
#[derive(Clone, Debug)]
pub struct ConfigSchema {
    pub formats: Vec<(String, FormatDefinition)>,
    pub tables: Vec<(String, Vec<(String, String)>)>,
    pub shortcuts: Vec<(String, String)>,
}

/// The sum of the widths of `fields`.
pub open spec fn widths_sum(fields: Seq<FieldDefinition>) -> int
    decreases fields.len(),
{
    if fields.len() == 0 {
        0
    } else {
        widths_sum(fields.drop_last()) + fields.last().len
    }
}

/// The sum of the widths of a prefix is at most the sum of all widths.
pub proof fn lemma_widths_sum_prefix(fields: Seq<FieldDefinition>, k: int)
    requires
        0 <= k <= fields.len(),
    ensures
        0 <= widths_sum(fields.subrange(0, k)) <= widths_sum(fields),
    decreases fields.len(),
{
    if fields.len() > 0 {
        if k == fields.len() {
            assert(fields.subrange(0, k) =~= fields);
            lemma_widths_sum_prefix(fields.drop_last(), k - 1);
        } else {
            lemma_widths_sum_prefix(fields.drop_last(), k);
            assert(fields.drop_last().subrange(0, k) =~= fields.subrange(0, k));
        }
    }
}

/// Removing one field takes exactly its width off the sum.
pub proof fn lemma_widths_sum_remove(fields: Seq<FieldDefinition>, j: int)
    requires
        0 <= j < fields.len(),
    ensures
        widths_sum(fields) == widths_sum(fields.remove(j)) + fields[j].len,
    decreases fields.len(),
{
    if j < fields.len() - 1 {
        lemma_widths_sum_remove(fields.drop_last(), j);
        assert(fields.remove(j).drop_last() =~= fields.drop_last().remove(j));
    } else {
        assert(fields.remove(j) =~= fields.drop_last());
    }
}

/// The record length of a layout does not depend on the order of its
/// fields: two field lists that are permutations of each other have the
/// same width sum.
pub proof fn lemma_format_length_permutation(a: Seq<FieldDefinition>, b: Seq<FieldDefinition>)
    requires
        a.to_multiset() == b.to_multiset(),
    ensures
        widths_sum(a) == widths_sum(b),
    decreases a.len(),
{
    if a.len() == 0 {
        assert(b.to_multiset().len() == 0);
        assert(b.len() == 0);
    } else {
        let x = a.last();
        let rest = a.drop_last();
        assert(rest.push(x) =~= a);
        assert(a.to_multiset() =~= rest.to_multiset().insert(x));
        assert(b.to_multiset().count(x) > 0);
        assert(b.contains(x));
        let j = choose|j: int| 0 <= j < b.len() && b[j] == x;
        assert(b.remove(j).to_multiset() =~= b.to_multiset().remove(x));
        assert(rest.to_multiset() =~= b.remove(j).to_multiset());
        lemma_format_length_permutation(rest, b.remove(j));
        lemma_widths_sum_remove(b, j);
    }
}

/// Sums the widths of `fields`: the record length of the layout.
pub fn calculate_format_length(fields: &[FieldDefinition]) -> (r: usize)
    requires
        widths_sum(fields@) <= usize::MAX,
    ensures
        r == widths_sum(fields@),
{
    let mut total: usize = 0;
    let mut i: usize = 0;
    while i < fields.len()
        invariant
            i <= fields@.len(),
            widths_sum(fields@) <= usize::MAX,
            total == widths_sum(fields@.subrange(0, i as int)),
        decreases fields@.len() - i,
    {
        proof {
            lemma_widths_sum_prefix(fields@, i + 1);
            assert(fields@.subrange(0, i + 1).drop_last() =~= fields@.subrange(0, i as int));
        }
        total = total + fields[i].len;
        i = i + 1;
    }
    assert(fields@.subrange(0, fields@.len() as int) =~= fields@);
    total
}

/// Sums the widths of `fields`, or gives `None` where the sum does not fit
/// in `usize`.
pub fn checked_format_length(fields: &[FieldDefinition]) -> (r: Option<usize>)
    ensures
        r == (if widths_sum(fields@) <= usize::MAX {
            Some(widths_sum(fields@) as usize)
        } else {
            None::<usize>
        }),
{
    let mut total: usize = 0;
    let mut i: usize = 0;
    while i < fields.len()
        invariant
            i <= fields@.len(),
            total == widths_sum(fields@.subrange(0, i as int)),
        decreases fields@.len() - i,
    {
        proof {
            lemma_widths_sum_prefix(fields@, i + 1);
            assert(fields@.subrange(0, i + 1).drop_last() =~= fields@.subrange(0, i as int));
        }
        if fields[i].len > usize::MAX - total {
            return None;
        }
        total = total + fields[i].len;
        i = i + 1;
    }
    assert(fields@.subrange(0, fields@.len() as int) =~= fields@);
    Some(total)
}

/// Whether `i` is the first position of an entry keyed `key`.
pub open spec fn first_key_at<V>(entries: Seq<(String, V)>, key: Seq<char>, i: int) -> bool {
    0 <= i < entries.len() && entries[i].0@ == key && forall|j: int|
        0 <= j < i ==> (#[trigger] entries[j]).0@ != key
}

/// The position of the first entry keyed `key`, if any.
pub open spec fn key_index<V>(entries: Seq<(String, V)>, key: Seq<char>) -> Option<int> {
    if exists|i: int| first_key_at(entries, key, i) {
        Some(choose|i: int| first_key_at(entries, key, i))
    } else {
        None
    }
}

/// Finds the first entry keyed `key`.
pub fn find_key<V>(entries: &Vec<(String, V)>, key: &String) -> (r: Option<usize>)
    ensures
        match r {
            Some(i) => key_index(entries@, key@) == Some(i as int),
            None => key_index(entries@, key@) is None,
        },
{
    let mut i: usize = 0;
    while i < entries.len()
        invariant
            i <= entries@.len(),
            forall|j: int| 0 <= j < i ==> (#[trigger] entries@[j]).0@ != key@,
        decreases entries@.len() - i,
    {
        if entries[i].0 == *key {
            assert(first_key_at(entries@, key@, i as int));
            let ghost c = choose|c: int| first_key_at(entries@, key@, c);
            assert(c == i) by {
                if c < i {
                    assert(entries@[c].0@ != key@);
                } else if c > i {
                    assert(entries@[i as int].0@ != key@);
                }
            }
            return Some(i);
        }
        i = i + 1;
    }
    None
}

/// The description of `code` in the lookup table named `table`, if both exist.
pub open spec fn table_lookup(
    tables: Seq<(String, Vec<(String, String)>)>,
    table: Seq<char>,
    code: Seq<char>,
) -> Option<Seq<char>> {
    match key_index(tables, table) {
        None => None,
        Some(t) => match key_index(tables[t].1@, code) {
            None => None,
            Some(c) => Some(tables[t].1@[c].1@),
        },
    }
}

/// Looks `code` up in the lookup table named `table`.
pub fn lookup_description(
    tables: &Vec<(String, Vec<(String, String)>)>,
    table: &String,
    code: &String,
) -> (r: Option<String>)
    ensures
        match r {
            Some(d) => table_lookup(tables@, table@, code@) == Some(d@),
            None => table_lookup(tables@, table@, code@) is None,
        },
{
    match find_key(tables, table) {
        None => None,
        Some(t) => {
            let entries = &tables[t].1;
            match find_key(entries, code) {
                None => None,
                Some(c) => Some(entries[c].1.clone()),
            }
        },
    }
}

} // verus!
